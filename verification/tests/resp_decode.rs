use bytes::{BufMut, BytesMut};
use simple_redis::{
    BulkString, RespArray, RespDecode, RespDouble, RespError, RespFrame, RespMap, RespSet,
    SimpleError, SimpleString,
};

fn number_of(frame: &RespDouble) -> f64 {
    std::str::from_utf8(frame.as_bytes())
        .unwrap()
        .parse()
        .unwrap()
}

#[test]
fn array_test_array_decode() {
    let mut buf = BytesMut::new();

    buf.extend_from_slice(b"*2\r\n+set\r\n+hello\r\n");
    let frame = RespArray::decode(&mut buf).unwrap();
    assert_eq!(
        frame,
        RespArray::new(vec![
            SimpleString::new("set").into(),
            SimpleString::new("hello").into()
        ])
    );

    buf.extend_from_slice(b"*2\r\n$3\r\nset\r\n$5\r\nhello\r\n");
    let frame = RespArray::decode(&mut buf).unwrap();
    assert_eq!(
        frame,
        RespArray::new(vec![
            BulkString::from("set").into(),
            BulkString::from("hello").into()
        ])
    );

    buf.extend_from_slice(b"*2\r\n$3\r\nset\r\n");
    let ret = RespArray::decode(&mut buf);
    assert_eq!(ret.unwrap_err(), RespError::NotComplete);

    buf.extend_from_slice(b"$5\r\nhello\r\n");
    let frame = RespArray::decode(&mut buf).unwrap();
    assert_eq!(
        frame,
        RespArray::new(vec![
            BulkString::from("set").into(),
            BulkString::from("hello").into()
        ])
    );
}

#[test]
fn decode_test_array_decode() {
    let mut buf = BytesMut::new();

    buf.extend_from_slice(b"*2\r\n+set\r\n+hello\r\n");
    let frame = RespArray::decode(&mut buf).unwrap();
    assert_eq!(
        frame,
        RespArray::new(vec![
            SimpleString::new("set").into(),
            SimpleString::new("hello").into()
        ])
    );

    buf.extend_from_slice(b"*2\r\n$3\r\nset\r\n$5\r\nhello\r\n");
    let frame = RespArray::decode(&mut buf).unwrap();
    assert_eq!(
        frame,
        RespArray::new(vec![
            BulkString::from("set").into(),
            BulkString::from("hello").into()
        ])
    );

    buf.extend_from_slice(b"*2\r\n$3\r\nset\r\n");
    let ret = RespArray::decode(&mut buf);
    assert_eq!(ret.unwrap_err(), RespError::NotComplete);

    buf.extend_from_slice(b"$5\r\nhello\r\n");
    let frame = RespArray::decode(&mut buf).unwrap();
    assert_eq!(
        frame,
        RespArray::new(vec![
            BulkString::from("set").into(),
            BulkString::from("hello").into()
        ])
    );
}

#[test]
fn bool_test_boolean_decode() {
    let mut buf = BytesMut::new();
    buf.extend_from_slice(b"#t\r\n");

    let frame = bool::decode(&mut buf).unwrap();
    assert!(frame);

    buf.extend_from_slice(b"#f\r\n");

    let frame = bool::decode(&mut buf).unwrap();
    assert!(!frame);

    buf.extend_from_slice(b"#f\r");
    let ret = bool::decode(&mut buf);
    assert_eq!(ret.unwrap_err(), RespError::NotComplete);

    buf.put_u8(b'\n');
    let frame = bool::decode(&mut buf).unwrap();
    assert!(!frame);
}

#[test]
fn decode_test_boolean_decode() {
    let mut buf = BytesMut::new();
    buf.extend_from_slice(b"#t\r\n");

    let frame = bool::decode(&mut buf).unwrap();
    assert!(frame);

    buf.extend_from_slice(b"#f\r\n");

    let frame = bool::decode(&mut buf).unwrap();
    assert!(!frame);

    buf.extend_from_slice(b"#f\r");
    let ret = bool::decode(&mut buf);
    assert_eq!(ret.unwrap_err(), RespError::NotComplete);

    buf.put_u8(b'\n');
    let frame = bool::decode(&mut buf).unwrap();
    assert!(!frame);
}

#[test]
fn decode_test_simple_string_decode() {
    let mut buf = BytesMut::new();
    buf.extend_from_slice(b"+OK\r\n");

    let frame = SimpleString::decode(&mut buf).unwrap();
    assert_eq!(frame, SimpleString::new("OK"));

    buf.extend_from_slice(b"+hello\r");

    let ret = SimpleString::decode(&mut buf);
    assert_eq!(ret, Err(RespError::NotComplete));

    buf.put_u8(b'\n');
    let frame = SimpleString::decode(&mut buf).unwrap();
    assert_eq!(frame, SimpleString::new("hello"));
}

#[test]
fn simple_string_test_simple_string_decode() {
    let mut buf = BytesMut::new();
    buf.extend_from_slice(b"+OK\r\n");

    let frame = SimpleString::decode(&mut buf).unwrap();
    assert_eq!(frame, SimpleString::new("OK"));

    buf.extend_from_slice(b"+hello\r");

    let ret = SimpleString::decode(&mut buf);
    assert_eq!(ret, Err(RespError::NotComplete));

    buf.put_u8(b'\n');
    let frame = SimpleString::decode(&mut buf).unwrap();
    assert_eq!(frame, SimpleString::new("hello"));
}

#[test]
fn decode_test_simple_error_decode() {
    let mut buf = BytesMut::new();
    buf.extend_from_slice(b"-Error message\r\n");

    let frame = SimpleError::decode(&mut buf).unwrap();
    assert_eq!(frame, SimpleError::new("Error message"));
}

#[test]
fn simple_error_test_simple_error_decode() {
    let mut buf = BytesMut::new();
    buf.extend_from_slice(b"-Error message\r\n");

    let frame = SimpleError::decode(&mut buf).unwrap();
    assert_eq!(frame, SimpleError::new("Error message"));
}

#[test]
fn decode_test_double_decode() {
    let mut buf = BytesMut::new();
    buf.extend_from_slice(b",123.45\r\n");

    let frame = RespDouble::decode(&mut buf).unwrap();
    assert_eq!(number_of(&frame), 123.45);

    buf.extend_from_slice(b",+1.23456e-9\r\n");
    let frame = RespDouble::decode(&mut buf).unwrap();
    assert_eq!(number_of(&frame), 1.23456e-9);
}

#[test]
fn double_test_double_decode() {
    let mut buf = BytesMut::new();
    buf.extend_from_slice(b",123.45\r\n");

    let frame = RespDouble::decode(&mut buf).unwrap();
    assert_eq!(number_of(&frame), 123.45);

    buf.extend_from_slice(b",+1.23456e-9\r\n");
    let frame = RespDouble::decode(&mut buf).unwrap();
    assert_eq!(number_of(&frame), 1.23456e-9);
}

#[test]
fn decode_test_map_decode() {
    let mut buf = BytesMut::new();
    buf.extend_from_slice(b"%2\r\n+hello\r\n$5\r\nworld\r\n+foo\r\n$3\r\nbar\r\n");

    let frame = RespMap::decode(&mut buf).unwrap();
    let mut map = RespMap::new();
    map.insert("hello".to_string(), BulkString::from("world").into());
    map.insert("foo".to_string(), BulkString::from("bar").into());
    assert_eq!(frame, map);
}

#[test]
fn map_test_map_decode() {
    let mut buf = BytesMut::new();
    buf.extend_from_slice(b"%2\r\n+hello\r\n$5\r\nworld\r\n+foo\r\n$3\r\nbar\r\n");

    let frame = RespMap::decode(&mut buf).unwrap();
    let mut map = RespMap::new();
    map.insert("hello".to_string(), BulkString::from("world").into());
    map.insert("foo".to_string(), BulkString::from("bar").into());
    assert_eq!(frame, map);
}

#[test]
fn decode_test_set_decode() {
    let mut buf = BytesMut::new();
    buf.extend_from_slice(b"~2\r\n$3\r\nset\r\n$5\r\nhello\r\n");

    let frame = RespSet::decode(&mut buf).unwrap();
    assert_eq!(
        frame,
        RespSet::new(vec![
            BulkString::from("set").into(),
            BulkString::from("hello").into(),
        ])
    );
}

#[test]
fn set_test_set_decode() {
    let mut buf = BytesMut::new();
    buf.extend_from_slice(b"~2\r\n$3\r\nset\r\n$5\r\nhello\r\n");

    let frame = RespSet::decode(&mut buf).unwrap();
    assert_eq!(
        frame,
        RespSet::new(vec![
            BulkString::from("set").into(),
            BulkString::from("hello").into(),
        ])
    );
}

#[test]
fn frame_decode_picks_the_variant_by_its_tag() {
    let mut buf = BytesMut::from(&b"_\r\n:-7\r\n$-1\r\n*-1\r\n#t\r\n,1e3\r\n*0\r\n$0\r\n\r\n"[..]);
    assert_eq!(RespFrame::decode(&mut buf).unwrap(), simple_redis::RespNull.into());
    assert_eq!(RespFrame::decode(&mut buf).unwrap(), RespFrame::Integer(-7));
    assert_eq!(
        RespFrame::decode(&mut buf).unwrap(),
        simple_redis::RespNullBulkString.into()
    );
    assert_eq!(
        RespFrame::decode(&mut buf).unwrap(),
        simple_redis::RespNullArray.into()
    );
    assert_eq!(RespFrame::decode(&mut buf).unwrap(), RespFrame::Boolean(true));
    assert_eq!(
        RespFrame::decode(&mut buf).unwrap(),
        RespDouble::from_text(b"1e3").unwrap().into()
    );
    assert_eq!(
        RespFrame::decode(&mut buf).unwrap(),
        RespArray::new(vec![]).into()
    );
    assert_eq!(
        RespFrame::decode(&mut buf).unwrap(),
        BulkString::new(vec![]).into()
    );
    assert!(buf.is_empty());
}

#[test]
fn each_error_has_an_input() {
    let cases: Vec<(&[u8], RespError)> = vec![
        (b"#x\r\n", RespError::InvalidFrame),
        (b"_xy", RespError::InvalidFrame),
        (b"!abc\r\n", RespError::InvalidFrameType),
        (b"$-2\r\n", RespError::InvalidFrameLength(-2)),
        (b"*-5\r\n", RespError::InvalidFrameLength(-5)),
        (b"%-1\r\n", RespError::InvalidFrameLength(-1)),
        (b"+O", RespError::NotComplete),
        (b"", RespError::NotComplete),
        (b"$5\r\nhel", RespError::NotComplete),
        (b":12a\r\n", RespError::ParseIntError),
        (b":9223372036854775808\r\n", RespError::ParseIntError),
        (b"$x\r\n", RespError::ParseIntError),
        (b"+\xff\xfe\r\n", RespError::Utf8Error),
        (b",1.2.3\r\n", RespError::ParseFloatError),
        (b",\r\n", RespError::ParseFloatError),
    ];
    for (input, expected) in cases {
        let mut buf = BytesMut::from(input);
        assert_eq!(RespFrame::decode(&mut buf), Err(expected));
        assert_eq!(&buf[..], input);
    }
}

#[test]
fn typed_decoders_refuse_other_tags() {
    let mut buf = BytesMut::from(&b"-oops\r\n"[..]);
    assert_eq!(
        SimpleString::decode(&mut buf),
        Err(RespError::InvalidFrameType)
    );
    assert_eq!(&buf[..], b"-oops\r\n");
    let mut buf = BytesMut::from(&b"%1\r\n:1\r\n:2\r\n"[..]);
    assert_eq!(RespFrame::decode(&mut buf), Err(RespError::InvalidFrameType));
}

#[test]
fn integers_decode_at_their_limits() {
    let mut buf = BytesMut::from(&b":-9223372036854775808\r\n:+9223372036854775807\r\n:007\r\n"[..]);
    assert_eq!(i64::decode(&mut buf), Ok(i64::MIN));
    assert_eq!(i64::decode(&mut buf), Ok(i64::MAX));
    assert_eq!(i64::decode(&mut buf), Ok(7));
}

#[test]
fn bulk_string_may_hold_line_ends() {
    let mut buf = BytesMut::from(&b"$6\r\na\r\nb\0c\r\n+next\r\n"[..]);
    assert_eq!(
        RespFrame::decode(&mut buf).unwrap(),
        BulkString::new(b"a\r\nb\0c".to_vec()).into()
    );
    assert_eq!(&buf[..], b"+next\r\n");
}

#[test]
fn later_map_key_wins() {
    let mut buf = BytesMut::from(&b"%2\r\n+a\r\n:1\r\n+a\r\n:2\r\n"[..]);
    let map = RespMap::decode(&mut buf).unwrap();
    assert_eq!(map.len(), 1);
    assert_eq!(map.get("a"), Some(&RespFrame::Integer(2)));
}

#[test]
fn doubles_follow_the_grammar_of_numbers() {
    for text in [
        "0", "+0", "-0", "1.", ".5", "1e5", "1.5E-3", "+inf", "-Infinity", "NaN", "nan", "12.25",
    ] {
        assert!(RespDouble::from_text(text.as_bytes()).is_some(), "{}", text);
        assert!(text.parse::<f64>().is_ok(), "{}", text);
    }
    for text in ["", "+", ".", "e5", "1e", "1e+", "1.2.3", "0x10", "1 ", "in", "infinit", "--1"] {
        assert!(RespDouble::from_text(text.as_bytes()).is_none(), "{}", text);
        assert!(text.parse::<f64>().is_err(), "{}", text);
    }
}
