use simple_redis::backend::Backend;
use simple_redis::cmd::CommandError;
use simple_redis::lex::{less, same};
use simple_redis::numeral::{check_double_literal, push_decimal, push_signed, read_i64, scan_digits};
use simple_redis::text::{decimal_string, signed_string, to_lower};
use simple_redis::{BulkString, RespArray, RespError, RespFrame, RespMap, SimpleString};

#[test]
fn keys_are_ordered_as_in_a_dictionary() {
    let words: [&[u8]; 8] = [b"", b"a", b"a\0", b"ab", b"b", b"ba", b"\xc3\xa9", b"\xff"];
    for a in words {
        for b in words {
            assert_eq!(less(a, b), a < b, "{:?} {:?}", a, b);
            assert_eq!(same(a, b), a == b, "{:?} {:?}", a, b);
        }
    }
    assert_eq!("é".as_bytes(), b"\xc3\xa9");
    assert!("z" < "é" && less(b"z", "é".as_bytes()));
}

#[test]
fn numerals_are_read_as_std_reads_them() {
    for text in [
        "0", "+0", "-0", "7", "-7", "+7", "0007", "9223372036854775807", "9223372036854775808",
        "-9223372036854775808", "-9223372036854775809", "", "+", "-", "1 ", " 1", "1a", "--1",
        "99999999999999999999999", "-99999999999999999999999", "00000000000000000000000012",
    ] {
        assert_eq!(
            read_i64(text.as_bytes(), 0, text.len()),
            text.parse::<i64>().ok(),
            "{:?}",
            text
        );
    }
    assert_eq!(read_i64(b"x-12y", 1, 4), Some(-12));
    assert_eq!(scan_digits(b"ab123c", 2), 5);
    assert_eq!(scan_digits(b"ab123c", 0), 0);
}

#[test]
fn numerals_are_written_in_full() {
    let mut out = b">".to_vec();
    push_decimal(&mut out, 0);
    push_decimal(&mut out, 10);
    push_decimal(&mut out, u64::MAX);
    assert_eq!(out, b">01018446744073709551615");
    let mut out = Vec::new();
    push_signed(&mut out, 0);
    push_signed(&mut out, -1);
    push_signed(&mut out, i64::MIN);
    assert_eq!(out, b"+0-1-9223372036854775808");
    assert_eq!(decimal_string(0), "0");
    assert_eq!(decimal_string(1203), "1203");
    assert_eq!(signed_string(-45), "-45");
    assert_eq!(signed_string(i64::MIN), "-9223372036854775808");
    assert_eq!(signed_string(45), "45");
}

#[test]
fn number_texts_are_told_from_others() {
    assert!(check_double_literal(b"3.14"));
    assert!(check_double_literal(b"-INF"));
    assert!(!check_double_literal(b"3,14"));
    assert!(!check_double_literal(b"1e1.5"));
}

#[test]
fn capitals_are_lowered() {
    assert_eq!(to_lower(b"HGetAll-09 \xc3\x89"), b"hgetall-09 \xc3\x89");
}

#[test]
fn map_keeps_its_keys_in_order() {
    let mut map = RespMap::new();
    assert_eq!(map.insert("m".to_string(), RespFrame::Integer(1)), None);
    assert_eq!(map.insert("a".to_string(), RespFrame::Integer(2)), None);
    assert_eq!(map.insert("z".to_string(), RespFrame::Integer(3)), None);
    assert_eq!(
        map.insert("m".to_string(), RespFrame::Integer(4)),
        Some(RespFrame::Integer(1))
    );
    assert_eq!(map.len(), 3);
    assert_eq!(map.key_at(0), "a");
    assert_eq!(map.key_at(1), "m");
    assert_eq!(map.key_at(2), "z");
    assert_eq!(map.value_at(1), &RespFrame::Integer(4));
    assert_eq!(map.get("m"), Some(&RespFrame::Integer(4)));
    assert_eq!(map.get("b"), None);
    assert_eq!(map.clone(), map);
    assert_eq!(RespMap::default(), RespMap::new());
}

#[test]
fn accessors_give_back_what_was_put_in() {
    assert_eq!(SimpleString::new("hi").as_str(), "hi");
    let bulk = BulkString::new(vec![1, 2, 3]);
    assert_eq!(bulk.len(), 3);
    assert_eq!(bulk.as_slice(), &[1, 2, 3]);
    assert_eq!(bulk.into_bytes(), vec![1, 2, 3]);
    let array = RespArray::new(vec![RespFrame::Integer(1), RespFrame::Boolean(true)]);
    assert_eq!(array.len(), 2);
    assert_eq!(array.items()[1], RespFrame::Boolean(true));
    let copy = array.clone();
    assert_eq!(copy, array);
    assert_eq!(array.into_items().len(), 2);
}

#[test]
fn each_failure_has_its_words() {
    assert_eq!(RespError::InvalidFrame.message(), "Invalid frame");
    assert_eq!(RespError::InvalidFrameType.message(), "Invalid frame type");
    assert_eq!(
        RespError::InvalidFrameLength(-12).message(),
        "Invalid frame length: -12"
    );
    assert_eq!(RespError::NotComplete.message(), "Frame is not complete");
    assert_eq!(RespError::ParseIntError.message(), "Parse int error");
    assert_eq!(RespError::Utf8Error.message(), "Utf8 error");
    assert_eq!(RespError::ParseFloatError.message(), "Parse float error");
    assert_eq!(
        CommandError::InvalidCommand("x".to_string()).message(),
        "Invalid command: x"
    );
    assert_eq!(
        CommandError::InvalidArgument("y".to_string()).message(),
        "Invalid arguments: y"
    );
    assert_eq!(
        CommandError::RespError(RespError::NotComplete).message(),
        "Frame is not complete"
    );
    assert_eq!(CommandError::Utf8Error.message(), "Utf8 error");
}

#[test]
fn store_hands_out_copies() {
    let mut backend = Backend::new();
    backend.set("k".to_string(), BulkString::from("v").into());
    let first = backend.get("k");
    backend.set("k".to_string(), RespFrame::Integer(1));
    assert_eq!(first, Some(BulkString::from("v").into()));
    assert_eq!(backend.get("k"), Some(RespFrame::Integer(1)));
    assert_eq!(backend.hget("k", "f"), None);
    backend.hset("k".to_string(), "b".to_string(), RespFrame::Integer(2));
    backend.hset("k".to_string(), "a".to_string(), RespFrame::Integer(3));
    let hash = backend.hgetall("k").unwrap();
    assert_eq!(hash.len(), 2);
    assert_eq!(hash.key_at(0), "a");
    assert_eq!(backend.get("k"), Some(RespFrame::Integer(1)));
    assert_eq!(backend.hgetall("other"), None);
}
