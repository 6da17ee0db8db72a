use simple_redis::{
    BulkString, RespArray, RespDouble, RespEncode, RespFrame, RespMap, RespNullArray,
    RespNullBulkString, RespSet, SimpleError, SimpleString,
};

#[test]
fn test_array_encode() {
    let frame: RespFrame = RespFrame::Array(RespArray::new(vec![
        RespFrame::BulkString(BulkString::new(b"set".to_vec())),
        RespFrame::BulkString(BulkString::new(b"hello".to_vec())),
        RespFrame::BulkString(BulkString::new(b"world".to_vec())),
    ]));
    assert_eq!(
        frame.encode(),
        b"*3\r\n$3\r\nset\r\n$5\r\nhello\r\n$5\r\nworld\r\n"
    )
}

#[test]
fn test_null_array_encode() {
    let frame: RespFrame = RespFrame::NullArray(RespNullArray);
    assert_eq!(frame.encode(), b"*-1\r\n");
}

#[test]
fn test_boolean_encode() {
    let frame: RespFrame = RespFrame::Boolean(true);
    assert_eq!(frame.encode(), b"#t\r\n");
    let frame: RespFrame = RespFrame::Boolean(false);
    assert_eq!(frame.encode(), b"#f\r\n");
}

#[test]
fn test_bulk_string_encode() {
    let frame: RespFrame = RespFrame::BulkString(BulkString::new(b"Hello".to_vec()));
    assert_eq!(frame.encode(), b"$5\r\nHello\r\n");
}

#[test]
fn test_null_bulk_string_encode() {
    let frame: RespFrame = RespFrame::NullBulkString(RespNullBulkString);
    assert_eq!(frame.encode(), b"$-1\r\n");
}

#[test]
fn test_integer_encode() {
    let frame: RespFrame = RespFrame::Integer(42);
    assert_eq!(frame.encode(), b":+42\r\n");
    let frame: RespFrame = RespFrame::Integer(-42);
    assert_eq!(frame.encode(), b":-42\r\n");
}

#[test]
fn test_error_encode() {
    let frame: RespFrame = RespFrame::Error(SimpleError::new("Error message"));
    assert_eq!(frame.encode(), b"-Error message\r\n");
}

#[test]
fn test_simple_string_encode() {
    let frame: RespFrame = RespFrame::SimpleString(SimpleString::new("OK"));
    assert_eq!(frame.encode(), b"+OK\r\n");
}

fn double(x: f64) -> RespFrame {
    let text = if x == 0.0 {
        "+0".to_string()
    } else if x.abs() > 1e+8 || x.abs() < 1e-8 {
        format!("{:+e}", x)
    } else {
        let sign = if x < 0.0 { "" } else { "+" };
        format!("{}{}", sign, x)
    };
    RespDouble::from_text(text.as_bytes()).unwrap().into()
}

#[test]
fn test_double_encode() {
    let frame: RespFrame = double(123.456);
    assert_eq!(frame.encode(), b",+123.456\r\n");
    let frame: RespFrame = double(-123.456);
    assert_eq!(frame.encode(), b",-123.456\r\n");
    let frame: RespFrame = double(1.23456e+8);
    assert_eq!(frame.encode(), b",+1.23456e8\r\n");
    let frame: RespFrame = double(-1.23456e-9);
    assert_eq!(frame.encode(), b",-1.23456e-9\r\n");
}

#[test]
fn test_map_encode() {
    let mut map = RespMap::new();
    map.insert(
        "hello".to_string(),
        BulkString::new("world".to_string().into_bytes()).into(),
    );
    map.insert("foo".to_string(), double(-123456.789));
    let frame: RespFrame = map.into();
    assert_eq!(
        frame.encode(),
        b"%2\r\n+foo\r\n,-123456.789\r\n+hello\r\n$5\r\nworld\r\n"
    )
}

#[test]
fn test_set_encode() {
    let set = RespSet::new(vec![
        RespArray::new(vec![1234.into(), true.into()]).into(),
        BulkString::from("world").into(),
    ]);
    let frame: RespFrame = set.into();
    assert_eq!(
        frame.encode(),
        b"~2\r\n*2\r\n:+1234\r\n#t\r\n$5\r\nworld\r\n"
    )
}

#[test]
fn every_float_has_a_double_frame() {
    let zero: RespFrame = double(0.0);
    assert_eq!(zero.encode(), b",+0\r\n");
    let zero: RespFrame = double(-0.0);
    assert_eq!(zero.encode(), b",+0\r\n");
    assert_eq!(double(f64::INFINITY).encode(), b",+inf\r\n");
    assert_eq!(double(f64::NEG_INFINITY).encode(), b",-inf\r\n");
    assert_eq!(double(f64::NAN).encode(), b",+NaN\r\n");
    assert_eq!(double(1e8).encode(), b",+100000000\r\n");
    assert_eq!(double(f64::MAX).encode(), b",+1.7976931348623157e308\r\n");
    assert_eq!(double(f64::MIN_POSITIVE).encode(), b",+2.2250738585072014e-308\r\n");
}

#[test]
fn typed_values_encode_as_their_frames() {
    assert_eq!(SimpleString::new("OK").encode(), b"+OK\r\n");
    assert_eq!(SimpleError::new("ERR").encode(), b"-ERR\r\n");
    assert_eq!(BulkString::from("").encode(), b"$0\r\n\r\n");
    assert_eq!(0i64.encode(), b":+0\r\n");
    assert_eq!(i64::MIN.encode(), b":-9223372036854775808\r\n");
    assert_eq!(i64::MAX.encode(), b":+9223372036854775807\r\n");
    assert_eq!(true.encode(), b"#t\r\n");
    assert_eq!(simple_redis::RespNull.encode(), b"_\r\n");
    assert_eq!(RespArray::new(vec![]).encode(), b"*0\r\n");
    assert_eq!(RespSet::new(vec![]).encode(), b"~0\r\n");
    assert_eq!(RespMap::default().encode(), b"%0\r\n");
    let ten: Vec<RespFrame> = (0..10).map(RespFrame::Integer).collect();
    assert!(RespArray::new(ten).encode().starts_with(b"*10\r\n:+0\r\n"));
}
