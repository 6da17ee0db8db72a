use bytes::BytesMut;
use simple_redis::backend::Backend;
use simple_redis::cmd::{
    Command, CommandError, CommandExecutor, Get, HGet, HGetAll, HSet, SetValue,
};
use simple_redis::{BulkString, RespArray, RespDecode, RespFrame, RespNull, SimpleString};

fn resp_ok() -> RespFrame {
    SimpleString::new("OK").into()
}

#[test]
fn test_hget_from_resp_array() {
    let mut buf = BytesMut::from("*3\r\n$4\r\nhget\r\n$5\r\nmykey\r\n$7\r\nmyfield\r\n");
    let frame = RespArray::decode(&mut buf).unwrap();
    let hget = HGet::try_from(frame).unwrap();
    assert_eq!(hget.key, "mykey");
    assert_eq!(hget.field, "myfield");
}

#[test]
fn test_hset_from_resp_array() {
    let mut buf =
        BytesMut::from("*4\r\n$4\r\nhset\r\n$5\r\nmykey\r\n$7\r\nmyfield\r\n$7\r\nmyvalue\r\n");
    let frame = RespArray::decode(&mut buf).unwrap();
    let hset = HSet::try_from(frame).unwrap();
    assert_eq!(hset.key, "mykey");
    assert_eq!(hset.field, "myfield");
    assert_eq!(hset.value, BulkString::from("myvalue").into());
}

#[test]
fn test_hgetall_from_resp_array() {
    let mut buf = BytesMut::from("*2\r\n$7\r\nhgetall\r\n$5\r\nmykey\r\n");
    let frame = RespArray::decode(&mut buf).unwrap();
    let hgetall = HGetAll::try_from(frame).unwrap();
    assert_eq!(hgetall.key, "mykey");
}

#[test]
fn test_hset_hset_command() {
    let mut backend = Backend::new();
    let cmd = HSet {
        key: "hello".into(),
        field: "myfield".into(),
        value: BulkString::from("world").into(),
    };
    let result = cmd.execute(&mut backend);
    assert_eq!(result, resp_ok());

    let cmd = HSet {
        key: "hello".into(),
        field: "myfield1".into(),
        value: BulkString::from("world1").into(),
    };
    let result = cmd.execute(&mut backend);
    assert_eq!(result, resp_ok());

    let cmd = HGet {
        key: "hello".into(),
        field: "myfield".into(),
    };
    let result = cmd.execute(&mut backend);
    assert_eq!(result, BulkString::from("world").into());

    let cmd = HGetAll {
        key: "hello".into(),
        sort: true,
    };

    let expected = RespArray::new(vec![
        BulkString::from("myfield").into(),
        BulkString::from("world").into(),
        BulkString::from("myfield1").into(),
        BulkString::from("world1").into(),
    ]);
    let result = cmd.execute(&mut backend);
    assert_eq!(result, expected.into());
}

#[test]
fn test_get_try_from_resp_array() {
    let mut buf = BytesMut::from("*2\r\n$3\r\nget\r\n$5\r\nhello\r\n");

    let frame = RespArray::decode(&mut buf).unwrap();
    let get = Get::try_from(frame).unwrap();
    assert_eq!(get.key, "hello");
}

#[test]
fn test_set_try_from_resp_array() {
    let mut buf = BytesMut::from("*3\r\n$3\r\nset\r\n$5\r\nhello\r\n$5\r\nworld\r\n");

    let frame = RespArray::decode(&mut buf).unwrap();
    let result = SetValue::try_from(frame).unwrap();
    assert_eq!(result.key, "hello");
    assert_eq!(result.value, BulkString::from("world").into());
}

#[test]
fn test_set_get_command() {
    let mut backend = Backend::new();
    let cmd = SetValue {
        key: "hello".into(),
        value: BulkString::from("world").into(),
    };
    let result = cmd.execute(&mut backend);
    assert_eq!(result, resp_ok());

    let cmd = Get {
        key: "hello".into(),
    };
    let result = cmd.execute(&mut backend);
    assert_eq!(result, BulkString::from("world").into());
}

fn request(parts: &[&[u8]]) -> RespArray {
    RespArray::new(
        parts
            .iter()
            .map(|p| BulkString::new(p.to_vec()).into())
            .collect(),
    )
}

#[test]
fn names_are_read_in_any_case() {
    let cmd = Command::from_array(request(&[b"GeT", b"k"])).unwrap();
    assert!(matches!(cmd, Command::Get(_)));
    let cmd = Command::from_array(request(&[b"HGETALL", b"k"])).unwrap();
    assert!(matches!(cmd, Command::HGetAll(_)));
    let get = Get::try_from(request(&[b"GET", b"k"])).unwrap();
    assert_eq!(get.key, "k");
}

#[test]
fn unknown_name_is_no_error() {
    let cmd = Command::from_array(request(&[b"ping"])).unwrap();
    assert!(matches!(cmd, Command::Unrecognized(_)));
}

#[test]
fn wrong_arity_is_an_invalid_argument() {
    let err = Get::try_from(request(&[b"get"])).unwrap_err();
    assert_eq!(
        err,
        CommandError::InvalidArgument("get command must have exactly 1 arguments".to_string())
    );
    assert_eq!(
        err.message(),
        "Invalid arguments: get command must have exactly 1 arguments"
    );
    let err = HSet::try_from(request(&[b"hset", b"k", b"f"])).unwrap_err();
    assert_eq!(
        err,
        CommandError::InvalidArgument("hset command must have exactly 3 arguments".to_string())
    );
}

#[test]
fn wrong_name_is_an_invalid_command() {
    let err = Get::try_from(request(&[b"set", b"k"])).unwrap_err();
    assert_eq!(
        err,
        CommandError::InvalidCommand("Invalid command: expected get, got set".to_string())
    );
}

#[test]
fn wrong_argument_types_are_refused() {
    let array = RespArray::new(vec![BulkString::from("get").into(), RespFrame::Integer(1)]);
    assert_eq!(
        Get::try_from(array).unwrap_err(),
        CommandError::InvalidArgument("Invalid key".to_string())
    );
    let array = RespArray::new(vec![RespFrame::Integer(1), BulkString::from("k").into()]);
    assert_eq!(
        Get::try_from(array).unwrap_err(),
        CommandError::InvalidArgument(
            "command must have a BulkString as first argument".to_string()
        )
    );
    let array = RespArray::new(vec![RespFrame::Integer(1)]);
    assert_eq!(
        Command::from_array(array).unwrap_err(),
        CommandError::InvalidCommand(
            "Command must have a BulkString as the first argument".to_string()
        )
    );
    assert_eq!(
        Command::try_from(RespFrame::Integer(1)).unwrap_err(),
        CommandError::InvalidCommand("Command must be an Array".to_string())
    );
}

#[test]
fn key_that_is_not_utf8_is_refused() {
    let err = Get::try_from(request(&[b"get", b"\xff\xfe"])).unwrap_err();
    assert_eq!(err, CommandError::Utf8Error);
    let err = HGet::try_from(request(&[b"hget", b"k", b"\xc3"])).unwrap_err();
    assert_eq!(err, CommandError::Utf8Error);
}

#[test]
fn absent_keys_give_null_and_an_empty_array() {
    let mut backend = Backend::new();
    let get = Get { key: "k".into() };
    assert_eq!(get.execute(&mut backend), RespNull.into());
    let hget = HGet {
        key: "k".into(),
        field: "f".into(),
    };
    assert_eq!(hget.execute(&mut backend), RespNull.into());
    let all = HGetAll {
        key: "k".into(),
        sort: false,
    };
    assert_eq!(all.execute(&mut backend), RespArray::new(vec![]).into());
}

#[test]
fn set_twice_is_set_once() {
    let mut once = Backend::new();
    let mut twice = Backend::new();
    for backend in [&mut once, &mut twice] {
        backend.set("a".to_string(), RespFrame::Integer(1));
    }
    twice.set("a".to_string(), RespFrame::Integer(1));
    twice.hset("h".to_string(), "f".to_string(), RespFrame::Integer(2));
    twice.hset("h".to_string(), "f".to_string(), RespFrame::Integer(2));
    once.hset("h".to_string(), "f".to_string(), RespFrame::Integer(2));
    assert_eq!(once.get("a"), twice.get("a"));
    assert_eq!(once.hgetall("h"), twice.hgetall("h"));
    assert_eq!(twice.hgetall("h").unwrap().len(), 1);
}

#[test]
fn sets_on_different_keys_both_stay() {
    let mut ab = Backend::new();
    ab.set("a".to_string(), RespFrame::Integer(1));
    ab.set("b".to_string(), RespFrame::Integer(2));
    let mut ba = Backend::new();
    ba.set("b".to_string(), RespFrame::Integer(2));
    ba.set("a".to_string(), RespFrame::Integer(1));
    for backend in [&ab, &ba] {
        assert_eq!(backend.get("a"), Some(RespFrame::Integer(1)));
        assert_eq!(backend.get("b"), Some(RespFrame::Integer(2)));
        assert_eq!(backend.get("c"), None);
    }
}
