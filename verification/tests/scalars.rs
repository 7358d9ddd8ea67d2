use anyhow::Result;
use bytes::BufMut;
use bytes::BytesMut;
use simple_redis::BulkString;
use simple_redis::RespDecode;
use simple_redis::RespDouble;
use simple_redis::RespEncode;
use simple_redis::RespError;
use simple_redis::RespFrame;
use simple_redis::RespNull;
use simple_redis::SimpleError;
use simple_redis::SimpleString;

fn buffer(bytes: &[u8]) -> BytesMut {
    let mut buf = BytesMut::new();
    buf.extend_from_slice(bytes);
    buf
}

fn is_invalid<T: std::fmt::Debug>(got: Result<T, RespError>) -> bool {
    matches!(got, Err(RespError::InvalidFrameType(_)))
}

#[test]
fn test_array_null_length() -> Result<()> {
    let data = b"*-1\r\n";

    assert_eq!(data.len(), 5);

    Ok(())
}

#[test]
fn test_string_usize() -> Result<()> {
    let s = "2";

    let v: usize = s.parse()?;
    assert_eq!(2, v);
    Ok(())
}

#[test]
fn test_simple_string_encode() -> Result<()> {
    let frame: RespFrame = SimpleString::new("OK".to_string()).into();

    assert_eq!(frame.encode(), b"+OK+\r\n");

    Ok(())
}

#[test]
fn test_simple_string_decode() -> Result<()> {
    let mut buf = BytesMut::new();
    buf.extend_from_slice(b"+OK\r\n");

    let frame = SimpleString::decode(&mut buf).unwrap();

    assert_eq!(frame, SimpleString::new("OK".to_string()));

    buf.extend_from_slice(b"+hello\r");

    let ret = SimpleString::decode(&mut buf);
    assert_eq!(ret.unwrap_err(), RespError::NotComplete);

    buf.put_u8(b'\n');

    let frame = SimpleString::decode(&mut buf).unwrap();
    assert_eq!(frame, SimpleString::new("hello".to_string()));

    Ok(())
}

#[test]
fn integer_encodes_with_tag_and_sign() {
    assert_eq!((-42i64).encode(), b":-42\r\n");
    assert_eq!(42i64.encode(), b":+42\r\n");
    assert_eq!(0i64.encode(), b":+0\r\n");
    assert_eq!(RespFrame::Integer(-42).encode(), b":-42\r\n");
}

#[test]
fn integer_extremes_encode_and_come_back() {
    assert_eq!(i64::MIN.encode(), b":-9223372036854775808\r\n");
    assert_eq!(i64::MAX.encode(), b":+9223372036854775807\r\n");
    for v in [i64::MIN, -1, 0, 1, 1234567890, i64::MAX] {
        let mut buf = buffer(&v.encode());
        assert_eq!(i64::decode(&mut buf), Ok(v));
        assert!(buf.is_empty());
    }
}

#[test]
fn integer_decodes() {
    let mut buf = buffer(b":-42\r\n");
    assert_eq!(i64::decode(&mut buf), Ok(-42));
    assert!(buf.is_empty());

    let mut buf = buffer(b":1000\r\nrest");
    assert_eq!(RespFrame::decode(&mut buf), Ok(RespFrame::Integer(1000)));
    assert_eq!(&buf[..], b"rest");

    let mut buf = buffer(b":+007\r\n");
    assert_eq!(i64::decode(&mut buf), Ok(7));
}

#[test]
fn integer_text_that_is_no_number_is_invalid() {
    for text in [
        &b":abc\r\n"[..],
        b":\r\n",
        b":+\r\n",
        b":-\r\n",
        b":1 2\r\n",
        b":9223372036854775808\r\n",
        b":-9223372036854775809\r\n",
        b":99999999999999999999999999\r\n",
    ] {
        let mut buf = buffer(text);
        assert!(is_invalid(i64::decode(&mut buf)), "{:?}", text);
        assert_eq!(&buf[..], text);
    }
}

#[test]
fn invalid_frame_carries_the_offending_bytes() {
    let mut buf = buffer(b":abc\r\n");
    assert_eq!(
        i64::decode(&mut buf),
        Err(RespError::InvalidFrameType(":abc\r\n".to_string()))
    );
    let mut buf = buffer(b"Z");
    assert_eq!(
        RespFrame::decode(&mut buf),
        Err(RespError::InvalidFrameType("Z".to_string()))
    );
}

#[test]
fn unknown_tag_is_invalid() {
    let mut buf = buffer(b"Z");
    assert!(is_invalid(RespFrame::decode(&mut buf)));
    assert_eq!(&buf[..], b"Z");
    assert!(is_invalid(RespFrame::expect_length(b"Zabc\r\n")));
}

#[test]
fn empty_buffer_is_not_complete() {
    let mut buf = BytesMut::new();
    assert_eq!(RespFrame::decode(&mut buf), Err(RespError::NotComplete));
    assert_eq!(RespFrame::expect_length(b""), Err(RespError::NotComplete));
}

#[test]
fn simple_error_round_trip() {
    let bytes = SimpleError::new("ERR unknown".to_string()).encode();
    assert_eq!(bytes, b"-ERR unknown\r\n");
    let mut buf = buffer(&bytes);
    assert_eq!(
        SimpleError::decode(&mut buf),
        Ok(SimpleError::new("ERR unknown".to_string()))
    );
    assert!(buf.is_empty());
    let mut buf = buffer(&bytes);
    assert_eq!(
        RespFrame::decode(&mut buf),
        Ok(RespFrame::SimpleError(SimpleError::new(
            "ERR unknown".to_string()
        )))
    );
}

#[test]
fn simple_string_encoding_keeps_its_delimiter() {
    let bytes = SimpleString::new("OK".to_string()).encode();
    assert_eq!(bytes, b"+OK+\r\n");
    let mut buf = buffer(&bytes);
    assert_eq!(
        SimpleString::decode(&mut buf),
        Ok(SimpleString::new("OK+".to_string()))
    );
}

#[test]
fn text_that_is_not_utf8_is_replaced() {
    let mut buf = buffer(b"+a\xffb\r\n");
    assert_eq!(
        SimpleString::decode(&mut buf),
        Ok(SimpleString::new("a\u{fffd}b".to_string()))
    );
    let mut buf = buffer("-gr\u{fc}n\r\n".as_bytes());
    assert_eq!(
        SimpleError::decode(&mut buf),
        Ok(SimpleError::new("gr\u{fc}n".to_string()))
    );
}

#[test]
fn wrong_tag_is_invalid_and_short_input_is_not_complete() {
    let mut buf = buffer(b"-OK\r\n");
    assert!(is_invalid(SimpleString::decode(&mut buf)));
    assert_eq!(&buf[..], b"-OK\r\n");
    let mut buf = buffer(b"-O");
    assert_eq!(SimpleString::decode(&mut buf), Err(RespError::NotComplete));
    let mut buf = buffer(b"+OK\r");
    assert_eq!(SimpleString::decode(&mut buf), Err(RespError::NotComplete));
    assert_eq!(&buf[..], b"+OK\r");
}

#[test]
fn bool_wire_forms() {
    assert_eq!(true.encode(), b"#t\r\n");
    assert_eq!(false.encode(), b"#f\r\n");
    let mut buf = buffer(b"#t\r\n#f\r\n");
    assert_eq!(bool::decode(&mut buf), Ok(true));
    assert_eq!(bool::decode(&mut buf), Ok(false));
    assert!(buf.is_empty());
    let mut buf = buffer(b"#x\r\n");
    assert!(is_invalid(bool::decode(&mut buf)));
    assert_eq!(&buf[..], b"#x\r\n");
    let mut buf = buffer(b"#t\r");
    assert_eq!(bool::decode(&mut buf), Err(RespError::NotComplete));
    assert_eq!(bool::expect_length(b"#t\r\n"), Ok(4));
    let mut buf = buffer(b"#f\r\n");
    assert_eq!(RespFrame::decode(&mut buf), Ok(RespFrame::Bool(false)));
}

#[test]
fn null_wire_form() {
    assert_eq!(RespNull.encode(), b"_\r\n");
    let mut buf = buffer(b"_\r\nx");
    assert_eq!(RespNull::decode(&mut buf), Ok(RespNull));
    assert_eq!(&buf[..], b"x");
    let mut buf = buffer(b"_\r");
    assert_eq!(RespNull::decode(&mut buf), Err(RespError::NotComplete));
    let mut buf = buffer(b"_ab");
    assert!(is_invalid(RespNull::decode(&mut buf)));
    assert_eq!(RespNull::expect_length(b"_\r\n"), Ok(3));
    let mut buf = buffer(b"_\r\n");
    assert_eq!(RespFrame::decode(&mut buf), Ok(RespFrame::Null(RespNull)));
}

#[test]
fn double_is_framed_as_text() {
    let d = RespDouble::new(b"+1.5e10".to_vec());
    assert_eq!(d.encode(), b",+1.5e10\r\n");
    let mut buf = buffer(b",-3.25\r\n");
    assert_eq!(
        RespFrame::decode(&mut buf),
        Ok(RespFrame::Double(RespDouble::new(b"-3.25".to_vec())))
    );
    assert!(buf.is_empty());
    assert_eq!(RespDouble::expect_length(b",-3.25\r\n"), Ok(8));
}

#[test]
fn null_bulk_string_is_not_the_empty_one() {
    assert_eq!(BulkString::nill_new().encode(), b"$-1\r\n");
    assert_eq!(BulkString::new(Vec::new()).encode(), b"$0\r\n\r\n");
    assert_ne!(BulkString::nill_new(), BulkString::new(Vec::new()));

    let mut buf = buffer(b"$-1\r\n");
    let null = BulkString::decode(&mut buf).unwrap();
    assert_eq!(null, BulkString::nill_new());
    assert!(buf.is_empty());
    assert_eq!(null.encode(), b"$-1\r\n");

    let mut buf = buffer(b"$0\r\n\r\n");
    let empty = BulkString::decode(&mut buf).unwrap();
    assert_eq!(empty, BulkString::new(Vec::new()));
    assert!(buf.is_empty());
    assert_ne!(empty, BulkString::nill_new());
}

#[test]
fn bulk_string_round_trip_and_lookahead() {
    let bytes = BulkString::new(b"hello".to_vec()).encode();
    assert_eq!(bytes, b"$5\r\nhello\r\n");
    assert_eq!(BulkString::expect_length(&bytes), Ok(11));
    assert_eq!(BulkString::expect_length(b"$5\r\n"), Ok(11));
    assert_eq!(BulkString::expect_length(b"$-1\r\n"), Ok(5));
    assert_eq!(BulkString::expect_length(b"$12\r\n"), Ok(19));
    let mut buf = buffer(&bytes);
    assert_eq!(
        BulkString::decode(&mut buf),
        Ok(BulkString::new(b"hello".to_vec()))
    );
    assert!(buf.is_empty());

    let binary = BulkString::new(vec![0, 13, 10, 255]);
    let mut buf = buffer(&binary.encode());
    assert_eq!(
        BulkString::decode(&mut buf),
        Ok(BulkString::new(vec![0, 13, 10, 255]))
    );
}

#[test]
fn bulk_string_waits_for_payload_and_line_end() {
    for text in [&b"$5\r\nhel"[..], b"$5\r\nhello", b"$5\r\nhello\r", b"$5\r", b"$"] {
        let mut buf = buffer(text);
        assert_eq!(BulkString::decode(&mut buf), Err(RespError::NotComplete));
        assert_eq!(&buf[..], text);
    }
}

#[test]
fn bulk_string_bad_lengths_are_invalid() {
    for text in [&b"$-2\r\n"[..], b"$x\r\nabc\r\n", b"$\r\n\r\n"] {
        let mut buf = buffer(text);
        assert!(is_invalid(BulkString::decode(&mut buf)), "{:?}", text);
        assert_eq!(&buf[..], text);
        assert!(is_invalid(BulkString::expect_length(text)));
    }
}

#[test]
fn bulk_length_far_beyond_the_buffer_waits() {
    let text = b"$9223372036854775807\r\nabc\r\n";
    let mut buf = buffer(text);
    assert_eq!(BulkString::decode(&mut buf), Err(RespError::NotComplete));
    assert_eq!(&buf[..], text);
    assert_eq!(
        BulkString::expect_length(text),
        Ok(22 + 9223372036854775807 + 2)
    );
    assert!(is_invalid(BulkString::expect_length(
        b"$9223372036854775808\r\n"
    )));
}

#[test]
fn errors_in_words() {
    assert_eq!(RespError::NotComplete.message(), "Frame not enough data");
    assert_eq!(
        RespError::InvalidFrameType("Z".to_string()).message(),
        "Invalid frame type: Z"
    );
    assert!(RespError::NotComplete.is_not_complete());
    assert!(!RespError::InvalidFrameType(String::new()).is_not_complete());
}
