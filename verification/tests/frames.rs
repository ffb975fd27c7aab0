use resp_decode::decode::Decode;
use resp_decode::error::DecodeError;
use resp_decode::value::Type;

fn decode_all_of(input: &[u8]) -> Result<Option<Type>, DecodeError> {
    let mut d = Decode::new(input.to_vec());
    d.decode_one()
}

fn expect_value(input: &[u8]) -> Type {
    match decode_all_of(input) {
        Ok(Some(t)) => t,
        Ok(None) => panic!("no frame decoded"),
        Err(_) => panic!("decode failed"),
    }
}

fn expect_error(input: &[u8]) -> DecodeError {
    match decode_all_of(input) {
        Err(e) => e,
        _ => panic!("decode did not fail"),
    }
}

#[test]
fn test_integer_zero() {
    match expect_value(b":0\r\n") {
        Type::Integer(n) => assert_eq!(n, 0),
        _ => panic!("not an integer"),
    }
}

#[test]
fn test_integer_positive() {
    match expect_value(b":12345\r\n") {
        Type::Integer(n) => assert_eq!(n, 12345),
        _ => panic!("not an integer"),
    }
}

#[test]
fn test_integer_negative() {
    match expect_value(b":-42\r\n") {
        Type::Integer(n) => assert_eq!(n, -42),
        _ => panic!("not an integer"),
    }
}

#[test]
fn test_integer_extremes() {
    match expect_value(b":9223372036854775807\r\n") {
        Type::Integer(n) => assert_eq!(n, i64::MAX),
        _ => panic!("not an integer"),
    }
    match expect_value(b":-9223372036854775808\r\n") {
        Type::Integer(n) => assert_eq!(n, i64::MIN),
        _ => panic!("not an integer"),
    }
}

#[test]
fn test_integer_one_past_extremes_overflows() {
    assert_eq!(
        expect_error(b":9223372036854775808\r\n"),
        DecodeError::IntegerOverflow
    );
    assert_eq!(
        expect_error(b":-9223372036854775809\r\n"),
        DecodeError::IntegerOverflow
    );
}

#[test]
fn test_integer_leading_zeros_accepted() {
    match expect_value(b":0012\r\n") {
        Type::Integer(n) => assert_eq!(n, 12),
        _ => panic!("not an integer"),
    }
}

#[test]
fn test_integer_invalid_payloads() {
    assert_eq!(expect_error(b":\r\n"), DecodeError::InvalidInteger);
    assert_eq!(expect_error(b":-\r\n"), DecodeError::InvalidInteger);
    assert_eq!(expect_error(b":12a\r\n"), DecodeError::InvalidInteger);
    assert_eq!(expect_error(b":+5\r\n"), DecodeError::InvalidInteger);
}

#[test]
fn test_null_bulk_string() {
    match expect_value(b"$-1\r\n") {
        Type::BulkString(opt) => assert!(opt.is_none()),
        _ => panic!("not a bulk string"),
    }
}

#[test]
fn test_null_array() {
    match expect_value(b"*-1\r\n") {
        Type::Array(opt) => assert!(opt.is_none()),
        _ => panic!("not an array"),
    }
}

#[test]
fn test_empty_array_is_not_null() {
    match expect_value(b"*0\r\n") {
        Type::Array(Some(elems)) => assert_eq!(elems.len(), 0),
        _ => panic!("not an empty array"),
    }
}

#[test]
fn test_unknown_tag_is_malformed() {
    assert_eq!(expect_error(b"@foo\r\n"), DecodeError::MalformedFrame);
}

#[test]
fn test_simple_string() {
    match expect_value(b"+OK\r\n") {
        Type::SimpleString(s) => assert_eq!(s, b"OK".to_vec()),
        _ => panic!("not a simple string"),
    }
}

#[test]
fn test_error_reply() {
    match expect_value(b"-ERR unknown command\r\n") {
        Type::Error(s) => assert_eq!(s, b"ERR unknown command".to_vec()),
        _ => panic!("not an error reply"),
    }
}

#[test]
fn test_bulk_string_binary_safe() {
    match expect_value(b"$4\r\nab\r\n\r\n") {
        Type::BulkString(Some(s)) => assert_eq!(s, b"ab\r\n".to_vec()),
        _ => panic!("not a bulk string"),
    }
}

#[test]
fn test_command_array_end_to_end() {
    match expect_value(b"*3\r\n$3\r\nSET\r\n$1\r\nh\r\n$3\r\n123\r\n") {
        Type::Array(Some(elems)) => {
            assert_eq!(elems.len(), 3);
            let expected: [&[u8]; 3] = [b"SET", b"h", b"123"];
            for (elem, want) in elems.iter().zip(expected.iter()) {
                match elem {
                    Type::BulkString(Some(s)) => assert_eq!(s, &want.to_vec()),
                    _ => panic!("element is not a bulk string"),
                }
            }
        }
        _ => panic!("not an array"),
    }
}

#[test]
fn test_mixed_nested_array() {
    match expect_value(b"*2\r\n*1\r\n+a\r\n:5\r\n") {
        Type::Array(Some(elems)) => {
            assert_eq!(elems.len(), 2);
            match &elems[0] {
                Type::Array(Some(inner)) => {
                    assert_eq!(inner.len(), 1);
                    match &inner[0] {
                        Type::SimpleString(s) => assert_eq!(s, &b"a".to_vec()),
                        _ => panic!("inner element is not a simple string"),
                    }
                }
                _ => panic!("first element is not an array"),
            }
            match &elems[1] {
                Type::Integer(n) => assert_eq!(*n, 5),
                _ => panic!("second element is not an integer"),
            }
        }
        _ => panic!("not an array"),
    }
}

#[test]
fn test_array_with_null_elements() {
    match expect_value(b"*2\r\n$-1\r\n*-1\r\n") {
        Type::Array(Some(elems)) => {
            assert_eq!(elems.len(), 2);
            assert!(matches!(elems[0], Type::BulkString(None)));
            assert!(matches!(elems[1], Type::Array(None)));
        }
        _ => panic!("not an array"),
    }
}

#[test]
fn test_empty_bulk_string_is_not_null() {
    match expect_value(b"$0\r\n\r\n") {
        Type::BulkString(Some(s)) => assert_eq!(s, Vec::<u8>::new()),
        _ => panic!("not an empty bulk string"),
    }
}

#[test]
fn test_lone_carriage_return_does_not_end_a_line() {
    match expect_value(b"+a\rb\r\n") {
        Type::SimpleString(s) => assert_eq!(s, b"a\rb".to_vec()),
        _ => panic!("not a simple string"),
    }
}

#[test]
fn test_pipelined_frames() {
    let mut d = Decode::new(b"+OK\r\n:42\r\n".to_vec());
    match d.decode_one() {
        Ok(Some(Type::SimpleString(s))) => assert_eq!(s, b"OK".to_vec()),
        _ => panic!("first frame wrong"),
    }
    match d.decode_one() {
        Ok(Some(Type::Integer(n))) => assert_eq!(n, 42),
        _ => panic!("second frame wrong"),
    }
    match d.decode_one() {
        Ok(None) => {}
        _ => panic!("expected a clean end of stream"),
    }
}

#[test]
fn test_parse_stores_result() {
    let mut d = Decode::new(b"+PONG\r\n".to_vec());
    d.parse().unwrap();
    match d.get_result() {
        Some(Type::SimpleString(s)) => assert_eq!(s, &b"PONG".to_vec()),
        _ => panic!("result not stored"),
    }
}

#[test]
fn test_parse_on_empty_source() {
    let mut d = Decode::new(Vec::new());
    assert!(d.parse().is_ok());
    assert!(d.get_result().is_none());
}

#[test]
fn test_scalar_parsers() {
    let status = b"+OK".to_vec();
    match Decode::parse_status(&status, 1) {
        Type::SimpleString(s) => assert_eq!(s, b"OK".to_vec()),
        _ => panic!("not a simple string"),
    }
    let err = b"-ERR".to_vec();
    match Decode::parse_error(&err, 1) {
        Type::Error(s) => assert_eq!(s, b"ERR".to_vec()),
        _ => panic!("not an error reply"),
    }
    let num = b":-7".to_vec();
    match Decode::parse_integer(&num, 1) {
        Ok(Type::Integer(n)) => assert_eq!(n, -7),
        _ => panic!("not an integer"),
    }
}
