use bytes::BytesMut;
use simple_redis::backend::Backend;
use simple_redis::pipeline::{request_handler, Connection};
use simple_redis::{
    BulkString, RespArray, RespDecode, RespDouble, RespEncode, RespError, RespFrame, RespMap,
    RespSet, SimpleError, SimpleString,
};

#[test]
fn get_on_an_empty_store_is_null() {
    let mut backend = Backend::new();
    let mut conn = Connection::new();
    let step = conn.feed(b"*2\r\n$3\r\nget\r\n$5\r\nhello\r\n", &mut backend);
    assert_eq!(step.output, b"_\r\n");
    assert!(!step.close);
}

#[test]
fn set_then_get() {
    let mut backend = Backend::new();
    let mut conn = Connection::new();
    let step = conn.feed(
        b"*3\r\n$3\r\nset\r\n$5\r\nhello\r\n$5\r\nworld\r\n",
        &mut backend,
    );
    assert_eq!(step.output, b"+OK\r\n");
    let step = conn.feed(b"*2\r\n$3\r\nget\r\n$5\r\nhello\r\n", &mut backend);
    assert_eq!(step.output, b"$5\r\nworld\r\n");
}

#[test]
fn hset_then_hget() {
    let mut backend = Backend::new();
    let mut conn = Connection::new();
    let step = conn.feed(
        b"*4\r\n$4\r\nhset\r\n$1\r\nh\r\n$1\r\nf\r\n$1\r\nv\r\n",
        &mut backend,
    );
    assert_eq!(step.output, b"+OK\r\n");
    let step = conn.feed(b"*3\r\n$4\r\nhget\r\n$1\r\nh\r\n$1\r\nf\r\n", &mut backend);
    assert_eq!(step.output, b"$1\r\nv\r\n");
}

#[test]
fn split_request_is_answered_once_it_is_whole() {
    let mut backend = Backend::new();
    let mut conn = Connection::new();
    let step = conn.feed(b"*2\r\n$3\r\nget\r\n$5\r\nhe", &mut backend);
    assert_eq!(step.output, b"");
    assert!(!step.close);
    let step = conn.feed(b"llo\r\n", &mut backend);
    assert_eq!(step.output, b"_\r\n");
}

#[test]
fn arity_error_is_answered_and_the_connection_goes_on() {
    let mut backend = Backend::new();
    let mut conn = Connection::new();
    let step = conn.feed(
        b"*1\r\n$3\r\nget\r\n*2\r\n$3\r\nget\r\n$1\r\nx\r\n",
        &mut backend,
    );
    assert_eq!(
        step.output,
        b"-Invalid arguments: get command must have exactly 1 arguments\r\n_\r\n"
    );
    assert!(!step.close);
}

#[test]
fn short_request_is_answered_with_an_error_and_the_connection_goes_on() {
    let mut backend = Backend::new();
    let mut conn = Connection::new();
    let step = conn.feed(
        b"*2\r\n$3\r\nget\r\n*2\r\n$3\r\nget\r\n$1\r\nx\r\n",
        &mut backend,
    );
    assert_eq!(step.output, b"-Invalid arguments: Invalid key\r\n");
    assert!(!step.close);
    let step = conn.feed(b"*2\r\n$3\r\nget\r\n$1\r\nx\r\n", &mut backend);
    assert_eq!(step.output, b"_\r\n");
}

#[test]
fn map_decodes_and_encodes_to_the_same_bytes() {
    let bytes = b"%2\r\n+a\r\n:+1\r\n+b\r\n:-2\r\n";
    let mut buf = BytesMut::from(&bytes[..]);
    let frame = RespFrame::decode(&mut buf).unwrap();
    let mut map = RespMap::new();
    map.insert("a".to_string(), RespFrame::Integer(1));
    map.insert("b".to_string(), RespFrame::Integer(-2));
    assert_eq!(frame, map.into());
    assert_eq!(frame.encode(), bytes);
}

#[test]
fn replies_come_in_the_order_of_the_requests() {
    let mut backend = Backend::new();
    let mut conn = Connection::new();
    let step = conn.feed(
        b"*3\r\n$3\r\nset\r\n$1\r\nk\r\n:1\r\n*2\r\n$3\r\nget\r\n$1\r\nk\r\n*3\r\n$3\r\nset\r\n$1\r\nk\r\n:2\r\n*2\r\n$3\r\nget\r\n$1\r\nk\r\n",
        &mut backend,
    );
    assert_eq!(step.output, b"+OK\r\n:+1\r\n+OK\r\n:+2\r\n");
}

#[test]
fn bytes_that_are_no_frame_close_the_connection() {
    let mut backend = Backend::new();
    let mut conn = Connection::new();
    let step = conn.feed(b"*2\r\n$3\r\nget\r\n$1\r\nk\r\n!boom\r\n", &mut backend);
    assert_eq!(step.output, b"_\r\n-Invalid frame type\r\n");
    assert!(step.close);
    let mut conn = Connection::new();
    let step = conn.feed(b"$-7\r\n", &mut backend);
    assert_eq!(step.output, b"-Invalid frame length: -7\r\n");
    assert!(step.close);
}

#[test]
fn request_that_is_no_array_is_answered_with_an_error() {
    let mut backend = Backend::new();
    let reply = request_handler(RespFrame::Integer(1), &mut backend);
    assert_eq!(
        reply,
        SimpleError::new("Invalid command: Command must be an Array").into()
    );
}

fn samples() -> Vec<RespFrame> {
    let mut map = RespMap::new();
    map.insert("z".to_string(), RespFrame::Boolean(false));
    map.insert("a".to_string(), BulkString::new(vec![0, 13, 10, 255]).into());
    vec![
        SimpleString::new("hello world").into(),
        SimpleError::new("ERR nope").into(),
        RespFrame::Integer(0),
        RespFrame::Integer(i64::MIN),
        RespFrame::Integer(i64::MAX),
        BulkString::new(vec![]).into(),
        BulkString::from("a\r\nb").into(),
        simple_redis::RespNullBulkString.into(),
        simple_redis::RespNullArray.into(),
        simple_redis::RespNull.into(),
        RespFrame::Boolean(true),
        RespDouble::from_text(b"-1.5e-7").unwrap().into(),
        RespDouble::from_text(b"+inf").unwrap().into(),
        RespArray::new(vec![]).into(),
        RespSet::new(vec![RespFrame::Integer(3), RespFrame::Integer(3)]).into(),
        map.into(),
    ]
}

#[test]
fn decoding_undoes_encoding() {
    let mut all = samples();
    all.push(RespArray::new(samples()).into());
    for frame in all {
        let mut buf = BytesMut::from(&frame.clone().encode()[..]);
        assert_eq!(RespFrame::decode(&mut buf), Ok(frame));
        assert!(buf.is_empty());
    }
}

#[test]
fn strict_prefix_is_not_complete_and_is_left_alone() {
    let whole = RespFrame::from(RespArray::new(samples())).encode();
    for cut in 0..whole.len() {
        let mut buf = BytesMut::from(&whole[..cut]);
        assert_eq!(RespFrame::decode(&mut buf), Err(RespError::NotComplete));
        assert_eq!(&buf[..], &whole[..cut]);
    }
}

#[test]
fn feeding_in_two_parts_is_feeding_at_once() {
    let whole: Vec<u8> = b"*3\r\n$3\r\nset\r\n$1\r\nk\r\n$2\r\nv1\r\n*2\r\n$3\r\nget\r\n$1\r\nk\r\n*4\r\n$4\r\nhset\r\n$1\r\nh\r\n$1\r\nf\r\n,1.5\r\n*2\r\n$7\r\nhgetall\r\n$1\r\nh\r\n".to_vec();
    let mut backend = Backend::new();
    let expected = Connection::new().feed(&whole, &mut backend).output;
    assert_eq!(
        expected,
        b"+OK\r\n$2\r\nv1\r\n+OK\r\n*2\r\n$1\r\nf\r\n,1.5\r\n"
    );
    for split in 0..=whole.len() {
        let mut backend = Backend::new();
        let mut conn = Connection::new();
        let mut output = conn.feed(&whole[..split], &mut backend).output;
        output.extend(conn.feed(&whole[split..], &mut backend).output);
        assert_eq!(output, expected);
    }
}
