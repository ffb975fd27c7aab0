use resp_decode::config::Config;
use resp_decode::cursor::Cursor;
use resp_decode::decode::decode_value;
use resp_decode::decode::Decode;
use resp_decode::error::DecodeError;
use resp_decode::value::Type;

fn decode_under(input: &[u8], config: Config) -> Result<Option<Type>, DecodeError> {
    let mut d = Decode::with_config(input.to_vec(), config);
    d.decode_one()
}

fn small_limits() -> Config {
    Config {
        max_bulk_len: 10,
        max_array_len: 2,
        max_depth: 2,
        max_line_len: 16,
    }
}

#[test]
fn test_default_limits() {
    let c = Config::default();
    assert_eq!(c.max_bulk_len, 536870912);
    assert_eq!(c.max_array_len, 1048576);
    assert_eq!(c.max_depth, 32);
    assert_eq!(c.max_line_len, 65536);
}

#[test]
fn test_bulk_over_limit_fails_before_reading() {
    // The declared length alone decides: no payload follows at all.
    assert!(matches!(
        decode_under(b"$11\r\n", small_limits()),
        Err(DecodeError::FrameTooLarge)
    ));
    // Under the default limits, one byte past the ceiling.
    let mut d = Decode::new(b"$536870913\r\n".to_vec());
    assert!(matches!(d.decode_one(), Err(DecodeError::FrameTooLarge)));
}

#[test]
fn test_bulk_at_limit_decodes() {
    match decode_under(b"$10\r\nabcdefghij\r\n", small_limits()) {
        Ok(Some(Type::BulkString(Some(s)))) => assert_eq!(s, b"abcdefghij".to_vec()),
        _ => panic!("bulk string at the limit must decode"),
    }
}

#[test]
fn test_array_over_limit() {
    assert!(matches!(
        decode_under(b"*3\r\n:1\r\n:2\r\n:3\r\n", small_limits()),
        Err(DecodeError::FrameTooLarge)
    ));
}

#[test]
fn test_depth_at_limit_decodes() {
    match decode_under(b"*1\r\n*1\r\n:0\r\n", small_limits()) {
        Ok(Some(Type::Array(Some(outer)))) => {
            assert_eq!(outer.len(), 1);
            match &outer[0] {
                Type::Array(Some(inner)) => {
                    assert_eq!(inner.len(), 1);
                    assert!(matches!(inner[0], Type::Integer(0)));
                }
                _ => panic!("inner element is not an array"),
            }
        }
        _ => panic!("nesting at the limit must decode"),
    }
}

#[test]
fn test_depth_one_past_limit_fails() {
    assert!(matches!(
        decode_under(b"*1\r\n*1\r\n*1\r\n:0\r\n", small_limits()),
        Err(DecodeError::MaxDepthExceeded)
    ));
}

#[test]
fn test_line_over_limit() {
    assert!(matches!(
        decode_under(b"+this line runs far past the bound\r\n", small_limits()),
        Err(DecodeError::FrameTooLarge)
    ));
}

#[test]
fn test_incomplete_frames() {
    let mut d = Decode::new(b"+OK".to_vec());
    assert!(matches!(d.decode_one(), Err(DecodeError::IncompleteFrame)));
    let mut d = Decode::new(b"$5\r\nab\r\n".to_vec());
    assert!(matches!(d.decode_one(), Err(DecodeError::IncompleteFrame)));
    let mut d = Decode::new(b"*2\r\n:1\r\n".to_vec());
    assert!(matches!(d.decode_one(), Err(DecodeError::IncompleteFrame)));
}

#[test]
fn test_malformed_frames() {
    let mut d = Decode::new(b"\r\n".to_vec());
    assert!(matches!(d.decode_one(), Err(DecodeError::MalformedFrame)));
    let mut d = Decode::new(b"$-2\r\n".to_vec());
    assert!(matches!(d.decode_one(), Err(DecodeError::MalformedFrame)));
    let mut d = Decode::new(b"*-2\r\n".to_vec());
    assert!(matches!(d.decode_one(), Err(DecodeError::MalformedFrame)));
    // Payload present but the trailing CRLF is not.
    let mut d = Decode::new(b"$3\r\nabcXY".to_vec());
    assert!(matches!(d.decode_one(), Err(DecodeError::MalformedFrame)));
}

#[test]
fn test_decode_value_on_cursor() {
    let mut c = Cursor::new(b":8\r\n+left\r\n".to_vec());
    let cfg = Config::default();
    match decode_value(&mut c, &cfg, 0) {
        Ok(Type::Integer(n)) => assert_eq!(n, 8),
        _ => panic!("not an integer"),
    }
    assert_eq!(c.remaining_len(), 7);
    match decode_value(&mut c, &cfg, 0) {
        Ok(Type::SimpleString(s)) => assert_eq!(s, b"left".to_vec()),
        _ => panic!("not a simple string"),
    }
    assert_eq!(c.remaining_len(), 0);
}
